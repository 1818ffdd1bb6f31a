[package]
name = "pam_setquota"
version = "0.1.0"
edition = "2021"
publish = false

[dependencies]
libc = "*"
mnt = "*"
nix = { version = "*", features = ["quota"] }
pam = "*"
pam-sys = "*"
syslog = "*"
users = "*"
