[package]
name = "instant_xml"
version = "0.1.0"
edition = "2021"
publish = false

[dependencies]
xmlparser = "*"
chrono = "*"
