[package]
name = "btree_reducer"
version = "0.1.0"
edition = "2021"
publish = false

[dependencies]
btree_dag = "*"
btree_error = "*"
