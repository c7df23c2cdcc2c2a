//! Core of a terminal stock watchlist: the shared watchlist state, the
//! fetch-response parse and merge pipeline, the tolerant persistence of the
//! tracked symbol codes, and a FIFO background task queue.

pub mod aio;
pub mod json;
pub mod stock;
