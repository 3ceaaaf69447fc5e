[package]
name = "mbl2"
version = "0.1.0"
edition = "2021"
publish = false

[dependencies]
rustc-hash = "*"
bstr = "*"
atoi = "*"
libc = "*"
log = "*"
ndk-sys = "*"
plt-rs = "*"
bhook = "*"
ctor = "*"
cxx = "*"
android_logger = "*"
