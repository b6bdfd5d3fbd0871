[package]
name = "prql-sql"
version = "0.1.0"
edition = "2021"
publish = false

[dependencies]
anyhow = "=1.0.104"
sqlformat = "=0.2.6"
sqlparser = "0.23"
