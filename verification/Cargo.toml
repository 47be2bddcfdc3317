[package]
name = "myglob"
version = "1.2.0"
edition = "2021"
publish = false

[dependencies]
chrono = "*"
encoding_rs = "*"
getopt = "*"
glob = "*"
glob-match = "*"
regex = "*"
termcolor = "*"
terminal_size = "*"
trash = "*"
unicode-normalization = "*"
