[package]
name = "twiggy_parser"
version = "0.1.0"
edition = "2021"
publish = false

[dependencies]
fallible-iterator = "=0.2.0"
gimli = "=0.19.0"
object = "=0.12.0"
twiggy-ir = "=0.6.0"
twiggy-traits = "=0.6.0"
typed-arena = "=1.7.0"
