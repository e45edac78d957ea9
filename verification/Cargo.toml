[package]
name = "mzt_transport"
version = "0.1.0"
edition = "2021"
publish = false

[dependencies]
bytes-kman = "=0.1.20"
hex = "=0.4.3"
rand = "=0.8.8"
relay-man = "=0.2.5"
socket2 = "=0.4.10"
muzzman-lib = "=0.3.5"
whoami = "=1.6.1"
