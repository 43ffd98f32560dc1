[package]
name = "vmm"
version = "0.1.0"
edition = "2021"
publish = false

[dependencies]
libc = "*"
kvm-bindings = "*"
kvm-ioctls = "*"
vm-memory = { version = "*", features = ["backend-mmap", "backend-bitmap"] }
vmm-sys-util = "*"
memfd = "*"
serde = { version = "*", features = ["derive"] }
serde_json = "*"
userfaultfd = "*"
