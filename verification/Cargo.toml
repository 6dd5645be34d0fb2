[package]
name = "resume_tailor"
version = "0.1.0"
edition = "2021"
publish = false

[dependencies]
serde = { version = "1", features = ["derive"] }
serde_json = "1"
itertools = "0.13"
printpdf = "0.7"
docx-rust = "0.1"
glyph_brush_layout = "0.2"
