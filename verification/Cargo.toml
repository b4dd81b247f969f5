[package]
name = "docsail"
version = "0.1.0"
edition = "2021"
publish = false

[dependencies]
pulldown-cmark = { version = "=0.13.6", default-features = false }
unicode-width = "=0.2.3"
crossterm = "=0.29.0"
ratatui = "=0.30.2"
ratatui-image = { version = "=11.1.0", default-features = false, features = ["crossterm"] }
image = { version = "=0.25.10", default-features = false, features = ["png"] }
merman = { version = "=0.9.3", default-features = false, features = ["png", "diagram-flowchart", "diagram-sequence"] }
