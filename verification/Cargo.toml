[package]
name = "mergetree"
version = "0.1.0"
edition = "2021"
publish = false

[dependencies]
libc = "=0.2.190"
nix = { version = "=0.31.3", features = ["fs"] }
structopt = "=0.3.26"
xattr = "=1.6.1"
