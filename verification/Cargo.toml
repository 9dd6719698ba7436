[package]
name = "table_extract"
version = "0.1.0"
edition = "2021"
publish = false

[dependencies]
csv = "1"
sxd-document = "0.3"
sxd-xpath = "0.4"

[dev-dependencies]
sxd_html = "*"
