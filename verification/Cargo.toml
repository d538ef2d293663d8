[package]
name = "fsm_graph"
version = "0.1.0"
edition = "2021"
publish = false

[dependencies]
itertools = "*"
linked-hash-map = "*"
linked_hash_set = "*"
proc-macro2 = "*"
syn = { version = "*", features = ["full"] }
