[package]
name = "sysinfo_dashboard"
version = "0.1.0"
edition = "2021"
publish = false

[dependencies]
android-activity = { version = "*", features = ["native-activity"] }
ndk = "*"
ndk-sys = "*"
jni = "*"
android_logger = "*"
log = "*"
