//! Speech to text for a voice channel: the decisions, data and formats of a bot
//! that joins a channel, records every speaker and transcribes what is said.

pub mod audio;
pub mod config;
pub mod discord;
pub mod ieee;
pub mod maps;
pub mod nn;
pub mod receiver;
pub mod recorder;
pub mod speech;
pub mod stream;
pub mod text;
pub mod wave;
pub mod ws;
