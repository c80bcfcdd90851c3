[package]
name = "rustbik-cube"
version = "0.1.0"
edition = "2021"
publish = false

[dependencies]
rand = "0.9"
bytemuck = "1"
memmap2 = "0.9"
pyo3 = "0.23"
ratatui = "0.29"
crossterm = "0.28"
tui-big-text = "0.7"
