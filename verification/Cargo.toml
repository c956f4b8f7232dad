[package]
name = "ripple_board"
version = "0.1.0"
edition = "2021"
publish = false

[dependencies]
bevy = { version = "=0.7.0", default-features = false, features = ["render", "bevy_winit", "x11"] }
# Not called from this crate. The derive crates of bevy 0.7 use the "full"
# feature of syn 1 without asking for it; the macros of darling ask for it.
darling = "=0.13.4"
