[package]
name = "cad_widgets"
version = "0.1.0"
edition = "2021"
publish = false

[dependencies]
egui = "0.33"
egui_tiles = "0.14"
