[package]
name = "async-winit"
version = "0.2.0"
edition = "2021"
publish = false

[dependencies]
async-channel = "1"
concurrent-queue = "2"
futures-lite = "1"
once_cell = "1"
parking = "2"
raw-window-handle = "0.5"
slab = "0.4"
unsend = "*"
winit = { version = "0.28", default-features = false, features = ["x11"] }
