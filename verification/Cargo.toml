[package]
name = "mpeg2ts_demux"
version = "0.1.0"
edition = "2021"
publish = false

[dependencies]
fixedbitset = "0.4"

[dev-dependencies]
data-encoding = "2"
bitstream-io = "2"
