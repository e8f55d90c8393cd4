[package]
name = "control_server"
version = "0.1.0"
edition = "2021"
publish = false

[dependencies]
crossbeam-channel = "*"
laminar = "*"
igd = "*"
local_ipaddress = "*"
spin_sleep = "*"
log = "*"
