[package]
name = "shader_formatter"
version = "0.1.0"
edition = "2021"
publish = false

[dependencies]
convert_case = "0.6"
toml = "0.8"
diff = "0.1"
