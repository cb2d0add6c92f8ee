[package]
name = "optionsbot"
version = "0.1.0"
edition = "2021"
publish = false

[dependencies]
anyhow = "1"
chrono = "0.4"
dotenv = "0.15"
pickledb = "0.5"
poise = "0.6"
serde = { version = "1", features = ["derive"] }
serenity = "0.12"
tokio = { version = "1", features = ["macros", "rt-multi-thread"] }
