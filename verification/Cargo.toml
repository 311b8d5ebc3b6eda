[package]
name = "mkv_subtitle_extractor"
version = "0.1.0"
edition = "2021"
publish = false
