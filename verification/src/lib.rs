//! The rules behind a printed morning receipt: what it says, when it says it, and
//! what becomes of it on paper.

pub mod bins;
pub mod cache;
pub mod calendar;
pub mod date;
pub mod font;
pub mod layout;
pub mod order;
pub mod printer;
pub mod raster;
pub mod report;
pub mod sequences;
pub mod settings;
pub mod text;
pub mod transport;
pub mod weather;
