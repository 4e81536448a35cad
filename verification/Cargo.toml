[package]
name = "signal_processing"
version = "0.1.0"
edition = "2021"
publish = false

[dependencies]
num = "=0.4.3"
thiserror = "=1.0.69"
ndarray = "=0.17.2"
ndarray-linalg = "=0.18.1"
plotters = { version = "=0.3.7", default-features = false, features = ["bitmap_backend", "bitmap_encoder", "svg_backend", "line_series", "point_series", "surface_series", "full_palette"] }
