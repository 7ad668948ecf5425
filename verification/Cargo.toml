[package]
name = "zar"
version = "0.1.0"
edition = "2021"
publish = false

[dependencies]
glium = "0.25"
glium-glyph = "0.6"
glyph_brush = "0.5"
walkdir = "2"
