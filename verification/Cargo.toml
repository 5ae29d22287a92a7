[package]
name = "nowayprompt"
version = "0.1.0"
edition = "2021"
publish = false

[dependencies]
libc = "=0.2.191"
memmap2 = "=0.9.12"
signal-hook = "=0.3.18"
wayland-client = "=0.31.15"
wayland-protocols = { version = "=0.32.13", features = ["client", "staging", "unstable"] }
wayland-protocols-wlr = { version = "=0.3.12", features = ["client"] }
xkbcommon = { version = "=0.8.0", default-features = false }
zeroize = "=1.9.1"
