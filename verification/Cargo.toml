[package]
name = "gql_core"
version = "0.1.0"
edition = "2021"
publish = false

[dependencies]
graphql-parser = "=0.2.3"
serde_json = { version = "=1.0.154", features = ["preserve_order"] }
async-trait = "=0.1.92"
