[package]
name = "gdut-r1-by-rust"
version = "0.1.0"
edition = "2021"
publish = false

[dependencies]
heapless = "0.8"
critical-section = { version = "1", features = ["std"] }
embedded-can = "0.4"
embassy-time = "*"
embassy-sync = "*"
embassy-futures = "*"
embassy-executor = { version = "*", features = ["arch-std", "executor-thread"] }
embassy-stm32 = { version = "*", features = ["stm32h723zg"] }
rtt-target = "*"
syn = { version = "2", features = ["full"] }
quote = "1"
proc-macro2 = "1"
