[package]
name = "af_xdp"
version = "0.1.0"
edition = "2021"
publish = false

[dependencies]
aya = "=0.14.0"
aya-ebpf = "0.1.1"
aya-log = "=0.3.0"
aya-log-ebpf = "0.1.0"
env_logger = "=0.11.11"
eyre = "=0.6.14"
log = "=0.4.34"
network-types = { version = "=0.2.0", default-features = false }
structopt = "=0.3.26"
tokio = { version = "=1.54.1", features = ["macros", "rt-multi-thread", "signal"] }
xsk-rs = "=0.11.0"
