[package]
name = "keyboard_pipeline"
version = "0.1.0"
edition = "2021"
publish = false

[dependencies]
keyberon = "=0.1.1"
usb-device = "=0.2.9"
cortex-m = "=0.7.10"
panic-halt = "=1.0.0"
cortex-m-rtic = "=1.1.4"
stm32f4xx-hal = { version = "=0.10.1", features = ["rt", "stm32f401", "usb_fs"] }
generic-array = "=0.13.3"
embedded-hal = "=0.2.7"
