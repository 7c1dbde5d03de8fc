[package]
name = "tls_certificate_exporter"
version = "0.1.0"
edition = "2021"
publish = false

[dependencies]
anyhow = "*"
axum = "*"
base64 = "*"
chrono = "*"
dotenvy = "*"
duration-str = "*"
futures = "*"
hickory-resolver = "*"
num-bigint = "*"
pem = "*"
prometheus = "*"
rustls-native-certs = "*"
rustls-pemfile = "*"
rustls-pki-types = "*"
serde = { version = "*", features = ["derive"] }
tokio = { version = "*", features = ["full"] }
tokio-rustls = { version = "*", default-features = false, features = ["ring", "logging", "tls12"] }
tracing = "*"
tracing-subscriber = "*"
webpki = "*"
webpki-roots = "*"
x509-certificate = "*"
