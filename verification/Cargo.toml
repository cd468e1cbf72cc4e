[package]
name = "fenix_profile"
version = "0.1.0"
edition = "2021"
publish = false
