[package]
name = "biodivine_boolean_functions"
version = "0.1.0"
edition = "2021"
publish = false

[dependencies]
csv = "=1.4.0"
tabled = "=0.15.0"
num-bigint = "=0.4.8"
thiserror = "=1.0.69"
itertools = "0.13"

[dev-dependencies]
regex = "=1.13.1"
