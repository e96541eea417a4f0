[package]
name = "ying_profiler"
version = "0.1.0"
edition = "2021"
publish = false

[dependencies]
allocator-api2 = "0.2"
backtrace = "=0.3.76"
coarsetime = "=0.1.38"
leapfrog = { version = "=0.3.3", features = ["stable_alloc"] }
once_cell = "=1.21.4"
