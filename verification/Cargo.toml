[package]
name = "etwviewer"
version = "0.1.0"
edition = "2021"
publish = false

[dependencies]
anyhow = "=1.0.104"
chrono = "=0.4.45"
clap = { version = "=4.6.7", features = ["derive"] }
crossterm = "=0.28.1"
ratatui = "=0.29.0"
regex = "=1.13.1"
windows = { version = "=0.58.0", features = ["Win32_System_Diagnostics_Etw", "Win32_Foundation", "Win32_System_Time"] }
