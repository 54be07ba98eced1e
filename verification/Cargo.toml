[package]
name = "cosmic_store"
version = "0.1.0"
edition = "2021"
publish = false

[dependencies]
appstream = "*"
flate2 = "*"
lexical-sort = "*"
regex = "*"
log = "*"
env_logger = "*"
fork = "*"
sys-locale = "*"
libflatpak = "*"
