[package]
name = "directrf"
version = "0.1.0"
edition = "2021"
publish = false

[dependencies]
postcard = { version = "=1.1.3", default-features = false }
heapless = "=0.8.0"
regex = "=1.13.1"
cortex-m = "=0.7.10"
stm32h7 = { version = "=0.16.0", features = ["stm32h7s"] }
libm = "=0.2.16"
chrono = "=0.4.45"
pico-args = "=0.5.0"
serialport = { version = "=4.10.1", default-features = false }
rand = "=0.9.5"
rand_chacha = "=0.9.0"
log = "=0.4.34"
env_logger = "=0.11.11"
anyhow = "=1.0.104"
ndarray = "=0.16.1"
rustfft = "=6.4.1"
realfft = "=3.5.0"
sdriq = "=0.1.0"
