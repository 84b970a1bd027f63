[package]
name = "lingo"
version = "0.1.0"
edition = "2021"
publish = false

[dependencies]
chrono = "0.4"
structopt = "0.3"
directories = "4"
log = "0.4"
env_logger = "0.9"
thiserror = "1"

[dependencies.plotters]
version = "0.3"
default-features = false
features = ["bitmap_backend", "bitmap_encoder", "chrono", "ab_glyph", "all_series", "all_elements"]
