[package]
name = "heap_size"
version = "0.1.0"
edition = "2021"
publish = false

[dependencies]
indexmap = "2"
la-arena = "0.3"
rowan = "0.15"
rustc-hash = "2"
smallvec = { version = "1", features = ["const_generics", "const_new", "union"] }
thin-vec = "0.2"
triomphe = { version = "0.1", default-features = false, features = ["std"] }
