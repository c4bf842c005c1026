[package]
name = "trie_keys"
version = "0.1.0"
edition = "2021"
publish = false

[dependencies]
nibble_vec = "0.0"
endian-type = "0.1"
