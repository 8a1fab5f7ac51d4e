[package]
name = "alyze"
version = "0.1.0"
edition = "2021"
publish = false

[dependencies]
icu_properties = "2"

[dev-dependencies]
icu_segmenter = "2"
unicode-segmentation = "1"
