[package]
name = "materialize"
version = "0.1.0"
edition = "2021"
publish = false

[dependencies]
native-windows-gui = { version = "=1.0.13", default-features = false }
spectrum-analyzer = { version = "1.5", default-features = false }
windows-registry = "0.2"
