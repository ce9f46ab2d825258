[package]
name = "rustup_toolchain_install_master"
version = "0.1.0"
edition = "2021"
publish = false

[dependencies]
ansi_term = "*"
anyhow = "*"
home = "*"
pbr = "*"
remove_dir_all = "*"
reqwest = { version = "*", default-features = false, features = ["blocking"] }
structopt = "*"
tar = "*"
tee = "*"
tempfile = "*"
xz2 = "*"
