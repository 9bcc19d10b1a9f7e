[package]
name = "veloq_runtime"
version = "0.1.0"
edition = "2021"
publish = false

[dependencies]
crossbeam-queue = "0.3"
crossbeam-deque = "0.8"
crossbeam-utils = "0.8"
num_cpus = "1"
libc = "0.2"
io-uring = "0.7"
atomic-waker = "1"
futures-core = "0.3"
intrusive-collections = "*"
windows-sys = { version = "*", features = ["Win32_Foundation", "Win32_Networking_WinSock", "Win32_Security", "Win32_Storage_FileSystem", "Win32_System_IO"] }
