[package]
name = "spatial_io"
version = "0.1.0"
edition = "2021"
publish = false

[dependencies]
num-bigint = "0.4"
serde_json = "1"
epsg-utils = "=0.0.3"
sha2 = "0.10"
hex = "0.4"
serde = { version = "1", features = ["derive"] }
thiserror = "2"
tempfile = "3"
arrow-array = { version = "58", default-features = false }
arrow-schema = { version = "58", default-features = false }
parquet = { version = "58", default-features = false, features = ["arrow"] }
geo-types = "0.7"
wkb = "0.9"
geotiff-reader = "0.7"
geotiff-core = "0.7"

[dev-dependencies]
