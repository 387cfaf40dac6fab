[package]
name = "thegraph_graphql"
version = "0.1.0"
edition = "2021"
publish = false

[dependencies]
graphql-parser = "0.2"
futures = "0.1"
http = "0.1"
hyper = "0.12"
serde_yaml = "0.8"
