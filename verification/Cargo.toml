[package]
name = "diesel_enums"
version = "0.2.1"
edition = "2021"
publish = false

[dependencies]
convert_case = "=0.8.0"
owo-colors = "=4.4.0"
syn = { version = "=2.0.119", features = ["full"] }
quote = "=1.0.47"
proc-macro2 = "=1.0.107"
thiserror = "=2.0.21"
diesel = { version = "=2.3.14", default-features = false, features = ["postgres", "sqlite"] }
deadpool-diesel = { version = "0.6", features = ["postgres", "sqlite", "rt_tokio_1"] }
deadpool-sync = "0.1"
tokio = { version = "1", features = ["sync"] }
dotenvy = "0.15"
