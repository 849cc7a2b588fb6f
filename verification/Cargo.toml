[package]
name = "ldap3"
version = "0.12.1"
edition = "2021"
publish = false

[dependencies]
bytes = "1"
cross-krb5 = "*"
futures-util = "0.3"
log = "0.4"
native-tls = "0.2"
percent-encoding = "2"
ring = "0.17"
rustls = { version = "0.23", default-features = false, features = ["ring", "std", "tls12"] }
rustls-native-certs = "0.8"
tokio = { version = "1", features = ["io-util", "macros", "net", "rt", "sync", "time"] }
tokio-native-tls = "0.3"
tokio-rustls = { version = "0.26", default-features = false, features = ["ring", "tls12"] }
tokio-stream = "0.1"
tokio-util = { version = "0.7", features = ["codec"] }
url = "2"
x509-parser = "*"
zeroize = "1"

[dev-dependencies]
nom = "7"
