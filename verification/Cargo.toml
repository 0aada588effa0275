[package]
name = "apple-codesign"
version = "0.1.0"
edition = "2021"
publish = false

[dependencies]
bcder = "=0.7.7"
bytes = "=1.12.1"
chrono = "=0.4.45"
clap = "=2.34.0"
cryptographic-message-syntax = "=0.28.0"
goblin = "=0.10.7"
hex = "=0.4.3"
log = "=0.4.34"
pem = "=4.0.0"
signature = "=2.2.0"
x509-certificate = "=0.25.0"
zeroize = "=1.9.1"
