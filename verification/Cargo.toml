[package]
name = "vsmb"
version = "0.1.0"
edition = "2021"
publish = false

[dependencies]
zerocopy = { version = "=0.8.63", features = ["derive"] }
futures = "=0.3.34"
async-trait = "=0.1.92"
thiserror = "=2.0.21"
tracing = "=0.1.44"
windows = { version = "=0.58.0", features = ["Win32_Foundation", "Win32_Security", "Win32_Storage_FileSystem", "Win32_System_IO", "Win32_System_Ioctl"] }
