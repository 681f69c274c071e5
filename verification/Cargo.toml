[package]
name = "zztff"
version = "0.1.0"
edition = "2021"
publish = false

[dependencies]
codepage-437 = "*"
num_enum = "=0.7.6"
thiserror = "=2.0.21"
