[package]
name = "idcard_sheet"
version = "0.1.0"
edition = "2021"
publish = false

[dependencies]
image = "0.25"
imageproc = "0.25"
printpdf = { version = "0.8", default-features = false }
clap = { version = "4", features = ["derive"] }
