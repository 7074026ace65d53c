[package]
name = "azure_vm_info"
version = "0.1.0"
edition = "2021"
publish = false

[dependencies]
regex = "=1.13.1"
itertools = "=0.15.0"
serde = { version = "=1.0.229", features = ["derive"] }
serde_json = "=1.0.154"
json = "=0.12.4"
colored = "=3.1.1"
log = "=0.4.35"
log4rs = "=1.4.0"
dotenv = "=0.15.0"
futures = "=0.3.34"
tokio = { version = "=1.54.1", features = ["macros", "rt-multi-thread"] }
reqwest = "=0.12.28"
azure_core = "=0.21.0"
azure_identity = "=0.21.0"
azure_mgmt_compute = "=0.21.0"
azure_mgmt_subscription = "=0.21.0"
