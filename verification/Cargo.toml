[package]
name = "nodeprot"
version = "0.1.0"
edition = "2021"
publish = false

[dependencies]
anyhow = "*"
async-trait = "*"
melnet = "*"
novasmt = "*"
serde = { version = "*", features = ["derive"] }
smol = "*"
stdcode = "*"
themelio-stf = "*"
tmelcrypt = "*"
