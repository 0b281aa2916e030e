[package]
name = "gitripper"
version = "0.1.0"
edition = "2021"
publish = false

[dependencies]
zip = { version = "*", default-features = false, features = ["deflate"] }
regex = "1"
anyhow = "1"
clap = { version = "4", features = ["derive"] }
memmap2 = "*"
once_cell = "1"
rayon = "1"
reqwest = { version = "*", features = ["blocking", "json"] }
serde_json = "1"
tempfile = "3"
git2 = "*"
ignore = "*"
blake3 = "1"
fs_extra = "1"
phf = { version = "*", features = ["macros"] }
