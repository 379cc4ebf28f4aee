[package]
name = "stupidalloc"
version = "0.1.0"
edition = "2021"
publish = false

[dependencies]
hashbrown = "=0.17.1"
allocator-api2 = "=0.2.21"
memmap2 = "=0.9.11"
minifb = "=0.29.0"
native-dialog = "=0.9.7"
lazy_static = "=1.5.1"
