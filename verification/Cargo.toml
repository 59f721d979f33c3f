[package]
name = "gillnet"
version = "0.1.0"
edition = "2021"
publish = false

[dependencies]
actix-web = { version = "4", default-features = false, features = ["macros"] }
actix-ws = "*"
awc = { version = "3", default-features = false }
base64 = "0.22"
bytes = "1"
bytestring = "1"
futures-util = "0.3"
jsonwebtoken = { version = "=11.1.0", default-features = false, features = ["rust_crypto"] }
regex = "1"
serde = { version = "1", features = ["derive"] }
serde_json = "1"
sha2 = "0.10"
tokio = { version = "1", features = ["macros"] }
wasmtime = { version = "44", default-features = false, features = ["cranelift", "runtime", "std", "wat"] }
yaml_serde = "*"
