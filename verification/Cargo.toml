[package]
name = "totp_rs"
version = "0.1.0"
edition = "2021"
publish = false

[dependencies]
getrandom = "*"
hmac = "*"
sha1 = "*"
qrcode = "*"
image = "*"

[dev-dependencies]
base32 = "*"
base64 = "*"
urlencoding = "*"
