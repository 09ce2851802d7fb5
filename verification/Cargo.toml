[package]
name = "nitro_attestation"
version = "0.1.0"
edition = "2021"
publish = false

[dependencies]
aws-nitro-enclaves-nsm-api = "0.4"
aws-nitro-enclaves-cose = "0.5"
clap = { version = "4", features = ["derive"] }
nix = "0.24"
