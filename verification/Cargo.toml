[package]
name = "wizards_bot"
version = "0.1.0"
edition = "2021"
publish = false

[dependencies]
form_urlencoded = "*"
json = "*"
once_cell = "*"
regex = "*"
roxmltree = "*"
signal-hook = "*"
time = { version = "*", features = ["formatting", "parsing"] }
tiny_http = "*"
ureq = "*"
url = "*"
