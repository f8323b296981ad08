[package]
name = "be_engine"
version = "0.1.0"
edition = "2021"
publish = false

[dependencies]
anyhow = "*"
thiserror = "*"
glm = "*"
gl = "*"
sdl2 = "*"
imgui = "*"
