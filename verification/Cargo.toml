[package]
name = "nxfs"
version = "0.1.0"
edition = "2021"
publish = false

[dependencies]
byteorder = "=1.5.0"
fuse = "=0.3.1"
libc = "=0.2.191"
nx = "=0.3.0"
time = "=0.1.45"

[dev-dependencies]
image = { version = "0.24", default-features = false, features = ["bmp"] }
