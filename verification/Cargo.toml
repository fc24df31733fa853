[package]
name = "leptos_lucide_rs"
version = "0.1.0"
edition = "2021"
publish = false

[dependencies]
convert_case = "*"
leptos = "*"
lucide-svg-rs = "*"
