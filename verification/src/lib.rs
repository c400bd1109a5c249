//! The verified core of a live candlestick overlay: command line intervals,
//! the candle window and its price precision, the feed's bootstrap and
//! reconnection decisions, and the pixel conversion for the compositor.

pub mod cli;
pub mod feed;
pub mod render;
pub mod state;
pub mod window;
