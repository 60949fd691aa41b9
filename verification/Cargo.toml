[package]
name = "primary_sale"
version = "0.1.0"
edition = "2021"
publish = false

[dependencies]
anyhow = "=1.0.104"
async-trait = "=0.1.92"
bincode = "=1.3.3"
log = "=0.4.34"
mpl-token-metadata = "=1.13.2"
solana-sdk = "=1.16.25"
# The two lines below only pin versions: with later versions of these two
# crates, mpl-token-metadata does not build against solana-sdk 1.16.
spl-memo = "=4.0.0"
spl-token = "=4.0.0"
