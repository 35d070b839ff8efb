[package]
name = "shapefile"
version = "0.7.0"
edition = "2021"
publish = false

[dependencies]
byteorder = "1"
dbase = "*"
geo-types = "0.7"
