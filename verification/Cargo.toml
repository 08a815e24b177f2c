[package]
name = "honeycomb-core"
version = "0.1.0"
edition = "2021"
publish = false

[dependencies]
num = "*"
thiserror = "*"
vtkio = { version = "*", default-features = false }
