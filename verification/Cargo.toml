[package]
name = "ion_size"
version = "0.1.0"
edition = "2021"
publish = false

[dependencies]
anyhow = "1"
clap = "4"
ion-rs = "0.18"
lowcharts = "0.5"
memmap = "0.7"
