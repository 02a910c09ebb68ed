//! A USDT/USDC perpetual spread bot for Bybit, as a verified library.
//!
//! The library holds the bot's own logic: which instruments form a tradable
//! pair, how requests to Bybit and Telegram are built and signed, how their
//! replies are judged, which orders open a position and which one unwinds a
//! half-filled entry, and which coins a session has already entered.
//! Network, clock, environment and floating-point price arithmetic stay with
//! the program that drives the library.

pub mod text;
pub mod error;
pub mod digest;
pub mod json;
pub mod bybit;
pub mod telegram;
pub mod bot;
