[package]
name = "vfio_passthrough"
version = "0.1.0"
edition = "2021"
publish = false

[dependencies]
displaydoc = "=0.2.7"
kvm-bindings = "=0.14.2"
kvm-ioctls = "=0.24.0"
libc = "=0.2.191"
serde = { version = "=1.0.229", features = ["derive"] }
serde_json = "=1.0.154"
thiserror = "=2.0.21"
vfio-bindings = "=0.6.2"
vfio-ioctls = "=0.6.1"
vm-allocator = "=0.1.4"
vmm-sys-util = "=0.15.0"
