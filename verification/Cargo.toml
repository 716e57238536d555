[package]
name = "spc_ingestion"
version = "0.1.0"
edition = "2021"
publish = false

[dependencies]
blake3 = "*"
unicode-normalization = "*"
unicode-segmentation = "*"
