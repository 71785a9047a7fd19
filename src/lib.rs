//! A small logger whose core is a bounded console sink: formatted text is
//! collected in a fixed-capacity byte buffer and handed to the host console
//! in whole chunks, never splitting what a single write supplied.

pub mod console;
pub mod model;
pub mod stream;
pub mod logger;
