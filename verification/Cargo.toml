[package]
name = "comet"
version = "0.1.0"
edition = "2021"
publish = false

[dependencies]
anyhow = "=1.0.104"
base64 = "=0.13.1"
md-5 = "=0.10.6"
sha1 = "=0.10.7"
sha2 = "=0.10.9"
hmac = "=0.12.1"
aes = "=0.8.4"
cfb-mode = "=0.8.2"
sha3 = "=0.9.1"
aes-gcm = "=0.10.3"
chacha20poly1305 = "=0.10.1"
lz_fnv = "=0.1.2"
hex = "=0.4.3"
rand = "=0.8.8"
xorshift = "=0.1.3"
url = "=2.5.8"
httparse = "=1.10.1"
regex = "=1.13.1"
aho-corasick = "=0.7.20"
ipnetwork = "=0.18.0"
uuid = "=0.8.2"
quick-protobuf = "=0.8.1"
serde = { version = "=1.0.229", features = ["derive"] }
serde_yaml = "=0.8.26"
bytes = "=1.12.1"
tokio = { version = "=1.54.1", features = ["full"] }
tokio-rustls = "=0.23.4"
webpki-roots = "=0.22.6"
trust-dns-proto = "0.20"
