[package]
name = "strawberry"
version = "0.1.0"
edition = "2021"
publish = false

[dependencies]
clap = "4"
owo-colors = "3"
simple-home-dir = "*"
lalrpop-util = "0.19"
plex = "0.3"
