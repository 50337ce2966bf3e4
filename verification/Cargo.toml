[package]
name = "golem_des"
version = "0.1.0"
edition = "2021"

[dependencies]
rand = "=0.6.5"
rand_chacha = "=0.1.1"
statrs = "=0.11.0"
serde = "1"
serde_derive = "1"
serde_json = "1"
csv = "1"
docopt = "1"
log = "0.4"
rayon = "1"
gnuplot = "0.0.46"
GSL = "*"
