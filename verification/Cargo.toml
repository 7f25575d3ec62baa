[package]
name = "docify_embed"
version = "0.1.0"
edition = "2021"
publish = false

[dependencies]
derive-syn-parse = "=0.2.0"
prettyplease = { version = "=0.2.37", features = ["verbatim"] }
proc-macro2 = "=1.0.107"
quote = "=1.0.47"
syn = { version = "=2.0.119", features = ["full", "visit"] }
