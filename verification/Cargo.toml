[package]
name = "oclock"
version = "0.1.0"
edition = "2021"
publish = false

[dependencies]
Inflector = "0.11"
clap = { version = "4", features = ["derive"] }
csv = "1"
ctrlc = "3"
diesel = { version = "2", features = ["sqlite"] }
diesel_migrations = "2"
env_logger = "0.10"
log = "0.4"
nng = "1"
schedule = "0.1"
serde = { version = "1", features = ["derive"] }
serde_json = "1"
thiserror = "1"
