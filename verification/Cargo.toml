[package]
name = "chess_mcts"
version = "0.1.0"
edition = "2021"
publish = false

[dependencies]
arrayvec = "=0.7.8"
shakmaty = "=0.30.1"
shakmaty-syzygy = "=0.28.1"
