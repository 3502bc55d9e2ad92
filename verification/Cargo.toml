[package]
name = "sievetube"
version = "0.1.0"
edition = "2021"
publish = false

[dependencies]
aws-config = { version = "=1.13.0", default-features = false, features = ["behavior-version-latest", "rt-tokio"] }
aws-sdk-route53 = { version = "=1.132.0", default-features = false, features = ["behavior-version-latest", "rt-tokio"] }
aws-smithy-http-client = { version = "=1.5.2", default-features = false, features = ["rustls-ring"] }
bytes = "=1.12.1"
dashmap = "=6.2.1"
http = "=1.5.0"
http-body-util = "=0.1.5"
hickory-resolver = { version = "=0.26.3", default-features = false, features = ["system-config", "tokio"] }
hyper = { version = "=1.12.0", features = ["full"] }
hyper-rustls = { version = "=0.27.10", default-features = false, features = ["http1", "http2", "ring", "webpki-roots", "tls12"] }
hyper-util = { version = "=0.1.21", features = ["full"] }
instant-acme = { version = "=0.8.5", default-features = false, features = ["hyper-rustls", "ring"] }
jsonwebtoken = "=9.3.1"
prometheus = { version = "=0.14.0", default-features = false }
quinn = { version = "=0.11.12", default-features = false, features = ["runtime-tokio", "rustls-ring"] }
rcgen = { version = "=0.14.10", default-features = false, features = ["crypto", "pem", "ring", "x509-parser"] }
redis = { version = "=1.8.1", default-features = false, features = ["tokio-comp", "connection-manager", "script"] }
ring = "=0.17.14"
rustls = { version = "=0.23.46", default-features = false, features = ["ring", "std", "tls12"] }
rustls-pemfile = "=2.2.0"
serde = { version = "=1.0.229", features = ["derive"] }
serde_json = "=1.0.154"
time = "=0.3.55"
tokio = { version = "=1.54.1", features = ["full"] }
tokio-rustls = { version = "=0.26.6", default-features = false, features = ["ring", "tls12"] }
toml = "=1.1.8"
tracing = "=0.1.44"
uuid = { version = "=1.29.0", features = ["v4"] }
wasmtime = { version = "=45.0.3", default-features = false, features = ["cranelift", "runtime", "std", "wat"] }
x509-parser = "=0.18.1"
