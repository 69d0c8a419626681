[package]
name = "wie"
version = "0.1.0"
edition = "2021"
publish = false

[dependencies]
anyhow = "=1.0.104"
clap = { version = "=4.6.7", features = ["derive"] }
cranelift = "=0.133.3"
cranelift-codegen = "=0.133.3"
cranelift-jit = "=0.133.3"
cranelift-module = "=0.133.3"
cranelift-native = "=0.133.3"
goblin = "=0.10.7"
iced-x86 = "=1.22.0"
libc = "=0.2.191"
# goblin adds up the end of a section in 32 bits to log it at level debug, which panics
# on a malformed section where overflow is checked. No build may reach that sum.
log = { version = "=0.4.35", features = ["max_level_info"] }
serde = { version = "=1.0.229", features = ["derive"] }
thiserror = "=2.0.21"
tracing = "=0.1.44"
tracing-subscriber = { version = "=0.3.23", features = ["env-filter"] }
