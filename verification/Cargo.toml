[package]
name = "petricheck"
version = "0.1.0"
edition = "2021"
publish = false

[dependencies]
citreelo = "=0.1.1"
graphviz_dot_builder = "=0.1.5"
itertools = "=0.15.0"
map-macro = "=0.3.0"
nom = "=8.0.0"
thiserror = "=2.0.21"
xml-rs = "=1.0.0"
