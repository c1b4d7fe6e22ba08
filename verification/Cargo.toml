[package]
name = "zee_edit"
version = "0.1.0"
edition = "2021"
publish = false

[dependencies]
ropey = "1"
unicode-segmentation = "1"
unicode-width = "0.1"
log = "0.4"
notify = "5"
zi = "0.3"
