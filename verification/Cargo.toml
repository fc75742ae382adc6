[package]
name = "django_templates"
version = "0.1.0"
edition = "2021"
publish = false

[dependencies]
num-bigint = "0.4"
num-traits = "0.2"
html-escape = "0.2"
encoding_rs = "0.8"
unicode-xid = "0.2"
either = "1"
sugar_path = "*"
cached = "*"
miette = "*"
thiserror = "*"
pyo3 = { version = "*", features = ["num-bigint"] }
