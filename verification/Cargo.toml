[package]
name = "file_explorer"
version = "0.1.0"
edition = "2021"
publish = false

[dependencies]
dirs = "5"
druid = { version = "0.8", features = ["im"] }
druid-widget-nursery = "*"
lazy_static = "1"
windows-sys = { version = "0.52", features = ["Win32_Foundation", "Win32_Storage_FileSystem"] }
