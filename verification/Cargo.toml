[package]
name = "surface_ratings"
version = "0.1.0"
edition = "2021"
publish = false

[dependencies]
csv = "=1.4.0"
glob = "=0.3.4"
rand = "=0.4.6"
rocket = { version = "=0.5.2", features = ["json"] }
rocket_dyn_templates = { version = "=0.2.0", features = ["handlebars"] }
serde = { version = "=1.0.229", features = ["derive"] }
serde_json = "=1.0.154"
