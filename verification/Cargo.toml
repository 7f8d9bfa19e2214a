[package]
name = "ft_linear_regression"
version = "0.1.0"
edition = "2021"
publish = false

[dependencies]
csv = "*"
serde = { version = "*", features = ["derive"] }
prettytable-rs = "*"
term = "*"
term_size = "*"
textplots = "*"
tabled = "*"
