[package]
name = "generic_filesystem"
version = "0.1.0"
edition = "2021"
publish = false

[dependencies]
async-trait = "*"
aws-config = "*"
aws-sdk-s3 = "*"
