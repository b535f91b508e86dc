[package]
name = "xero_howdy_qt"
version = "0.1.0"
edition = "2021"
publish = false

[dependencies]
cxx-qt = "0.7"
cxx-qt-lib = "0.7"
