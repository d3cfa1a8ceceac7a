[package]
name = "cita_tool"
version = "0.1.0"
edition = "2021"
publish = false

[dependencies]
ethabi = "=18.0.0"
hex = "=0.4.3"
rand = "=0.10.3"
secp256k1 = { version = "=0.33.1", features = ["recovery"] }
serde_json = "=1.0.154"
sha3 = "=0.12.0"
sodiumoxide = "=0.2.7"
uuid = { version = "=1.29.0", features = ["v4"] }

[dev-dependencies]
protobuf = "=3.7.2"
