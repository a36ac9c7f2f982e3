[package]
name = "kludgine"
version = "0.1.0"
edition = "2021"
publish = false

[dependencies]
justjson = "=0.3.0"
figures = "=0.4.3"
euclid = "0.22"
