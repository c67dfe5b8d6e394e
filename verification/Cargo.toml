[package]
name = "maquette_satysfi_language_server"
version = "0.1.0"
edition = "2021"
publish = false

[dependencies]
anyhow = "1"
itertools = "0.10"
log = "0.4"
lsp-server = "0.5"
lsp-types = "0.86"
pest = "2.1"
pest_derive = "2.1"
serde = { version = "1", features = ["derive"] }
serde_json = "1"
simplelog = "0.9"
toml = "0.5"
