[package]
name = "yveb"
version = "0.1.0"
edition = "2021"
publish = false

[dependencies]
# Not used directly by any code: it asks for syn 1 with its "full" feature
# on the proc-macro side, which bevy 0.7's derive crates rely on but omit
# to declare; without this line they do not build.
async-trait = "=0.1.58"
bevy = { version = "=0.7.0", default-features = false, features = ["render", "bevy_winit", "x11", "serialize"] }
csv = "=1.4.0"
serde = { version = "=1.0.229", features = ["derive"] }
serde_yaml = "=0.9.34"
