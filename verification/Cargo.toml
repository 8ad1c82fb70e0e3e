[package]
name = "bpaf"
version = "0.1.0"
edition = "2021"
publish = false

[dependencies]
owo-colors = { version = "3", features = ["supports-colors"] }
supports-color = "2"
shell-words = "1"
pulldown-cmark = { version = "0.9", default-features = false }
pulldown-cmark-to-cmark = "10"
diff = "0.1"
anyhow = "1"
cargo_metadata = "0.19"
syn = { version = "2", features = ["full"] }
prettyplease = "0.2"
