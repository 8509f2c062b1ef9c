[package]
name = "terraform_forge_cli"
version = "0.1.0"
edition = "2021"
publish = false

[dependencies]
clap = { version = "4", features = ["derive"] }
colored = "*"
glob = "*"
openapi-forge = "*"
terraform-forge = "*"

[dev-dependencies]
tempfile = "*"
