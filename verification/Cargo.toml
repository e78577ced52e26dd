[package]
name = "opensmtpd-filter-contentstrings"
version = "0.1.0"
edition = "2021"
publish = false

[dependencies]
mail-parser = "0.11"
regex = "=1.13.1"
