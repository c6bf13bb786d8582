[package]
name = "rua"
version = "0.1.0"
edition = "2021"
publish = false

[dependencies]
colored = "1"
directories = "2"
fs_extra = "1"
indexmap = "1"
itertools = "0.8"
log = "0.4"
raur = "2"
rm_rf = "0.3"
tar = "0.4"
xz2 = "0.1"
