[package]
name = "branch_integration"
version = "0.1.0"
edition = "2021"
publish = false

[dependencies]
anyhow = "=1.0.104"
bstr = "=1.13.1"
gix = { version = "=0.85.0", features = ["merge", "tree-editor"] }
kstring = "=2.0.2"
