[package]
name = "rgb_core"
version = "0.1.0"
edition = "2021"
publish = false

[dependencies]
amplify = "*"
baid58 = "*"
commit_verify = "*"
secp256k1-zkp = "*"
