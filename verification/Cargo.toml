[package]
name = "road_fighter"
version = "0.1.0"
edition = "2021"
publish = false

[dependencies]
minifb = "0.27"
rand = "0.8"
