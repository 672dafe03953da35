[package]
name = "lithos"
version = "0.1.0"
edition = "2021"
publish = false

[dependencies]
regex = "1"
base64 = "*"
blake2 = "*"
argparse = "*"
humantime = "*"
ipnetwork = "*"
libc = "*"
libcantal = "*"
libmount = "*"
log = "*"
nix = { version = "*", features = ["fs", "signal", "socket", "net", "process", "user", "mount", "sched", "resource"] }
quire = "*"
scan_dir = "*"
serde = { version = "1", features = ["derive"] }
serde_json = "1"
signal = "*"
ssh-keys = "*"
syslog = "*"
fern = "*"
failure = "*"
unshare = "*"
