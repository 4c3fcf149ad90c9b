[package]
name = "select_exec"
version = "0.1.0"
edition = "2021"
publish = false

[dependencies]
bigdecimal = "0.3"
boolinator = "2"
futures = "0.3"
async-recursion = "1"
nom-sql = "*"
