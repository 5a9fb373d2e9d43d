[package]
name = "greetd_login"
version = "0.1.0"
edition = "2021"
publish = false
